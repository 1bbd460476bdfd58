use vstd::prelude::*;

use crate::analysis::grouping::{
    group_plays, grouped, has_group, key_kept, lemma_group_of_key, lemma_group_origin,
    lemma_grouped_key_filter, stat_views, stats_from_groups, with_key, FromPlayGroup, GroupView,
    Play, PlayGroup,
};
use crate::navidrome::native::{SongData, TrackMap};
use crate::navidrome::Scrobble;

verus! {

broadcast use vstd::seq_lib::group_seq_properties;

/// How often an album was played. The time it was played for is the sum of
/// the durations of the scrobbles at positions `scrobbles`.
pub struct AlbumStat {
    pub name: String,
    pub artist: String,
    pub id: String,
    pub plays: u64,
    pub scrobbles: Vec<usize>,
}

impl View for AlbumStat {
    type V = GroupView;

    open spec fn view(&self) -> GroupView {
        GroupView {
            id: self.id@,
            name: self.name@,
            artist: self.artist@,
            plays: self.plays as nat,
            scrobbles: self.scrobbles@,
        }
    }
}

pub open spec fn album_stat_views(stats: Seq<AlbumStat>) -> Seq<GroupView> {
    stats.map_values(|s: AlbumStat| s@)
}

/// The album identifiers a request is limited to, if any.
pub open spec fn selection_view(selection: Option<Vec<String>>) -> Option<Seq<String>> {
    match selection {
        Some(ids) => Some(ids@),
        None => None,
    }
}

/// Whether an album passes the selection.
pub open spec fn album_selected(selection: Option<Seq<String>>, album_id: Seq<char>) -> bool {
    match selection {
        None => true,
        Some(ids) => exists|i: int| 0 <= i < ids.len() && #[trigger] ids[i]@ == album_id,
    }
}

/// One play per scrobble whose track is known and whose album passes the
/// selection, credited to the album.
pub open spec fn album_plays(
    scrobbles: Seq<Scrobble>,
    tracks: Map<Seq<char>, SongData>,
    selection: Option<Seq<String>>,
) -> Seq<Play>
    decreases scrobbles.len(),
{
    if scrobbles.len() == 0 {
        Seq::empty()
    } else {
        let earlier = album_plays(scrobbles.drop_last(), tracks, selection);
        let id = scrobbles.last().media_file_id@;
        if tracks.contains_key(id) && album_selected(selection, tracks[id].album_id@) {
            let song = tracks[id];
            earlier.push(
                Play {
                    key: song.album_id,
                    name: song.album,
                    artist: song.artist,
                    scrobble: (scrobbles.len() - 1) as usize,
                },
            )
        } else {
            earlier
        }
    }
}

/// Whether `id` is one of `ids`.
pub fn contains_id(ids: &Vec<String>, id: &String) -> (r: bool)
    ensures
        r == exists|i: int| 0 <= i < ids@.len() && #[trigger] ids@[i]@ == id@,
{
    let mut i: usize = 0;
    while i < ids.len()
        invariant
            i <= ids@.len(),
            forall|k: int| 0 <= k < i ==> #[trigger] ids@[k]@ != id@,
        decreases ids@.len() - i,
    {
        if ids[i] == *id {
            assert(ids@[i as int]@ == id@);
            return true;
        }
        i = i + 1;
    }
    false
}

impl FromPlayGroup for AlbumStat {
    open spec fn group_view(g: GroupView) -> GroupView {
        g
    }

    fn from_group(g: PlayGroup) -> (r: AlbumStat) {
        AlbumStat { name: g.name, artist: g.artist, id: g.id, plays: g.plays, scrobbles: g.scrobbles }
    }
}

impl AlbumStat {
    /// The plays of the scrobbles, grouped by album, the albums in the order
    /// in which they are first played; only scrobbles whose track is known
    /// count, and, given a selection, only those of the selected albums.
    pub fn group(scrobbles: Vec<&Scrobble>, track_hashmap: &TrackMap, selection: Option<
        Vec<String>,
    >) -> (r: Vec<AlbumStat>)
        ensures
            album_stat_views(r@) == grouped(
                album_plays(scrobbles@.unref(), track_hashmap@, selection_view(selection)),
            ),
    {
        let ghost s = scrobbles@.unref();
        let mut plays: Vec<Play> = Vec::new();
        let n = scrobbles.len();
        for i in 0..n
            invariant
                n == s.len(),
                s == scrobbles@.unref(),
                plays@ == album_plays(s.take(i as int), track_hashmap@, selection_view(selection)),
        {
            let scrobble = scrobbles[i];
            assert(s.take(i + 1).drop_last() =~= s.take(i as int));
            assert(s.take(i + 1).last() == *scrobble);
            match track_hashmap.get(&scrobble.media_file_id) {
                Some(song) => {
                    let selected = match &selection {
                        None => true,
                        Some(ids) => contains_id(ids, &song.album_id),
                    };
                    assert(selected == album_selected(selection_view(selection), song.album_id@));
                    if selected {
                        plays.push(
                            Play {
                                key: song.album_id.clone(),
                                name: song.album.clone(),
                                artist: song.artist.clone(),
                                scrobble: i,
                            },
                        );
                    }
                },
                None => {},
            }
        }
        assert(s.take(n as int) =~= s);
        let groups = group_plays(plays);
        let stats = stats_from_groups(groups);
        assert(album_stat_views(stats@) =~= stat_views(stats@));
        stats
    }
}

/// Whether a scrobble counts as a play of album `k`.
pub open spec fn plays_album(
    tracks: Map<Seq<char>, SongData>,
    selection: Option<Seq<String>>,
    k: Seq<char>,
) -> spec_fn(Scrobble) -> bool {
    |x: Scrobble|
        tracks.contains_key(x.media_file_id@) && album_selected(
            selection,
            tracks[x.media_file_id@].album_id@,
        ) && tracks[x.media_file_id@].album_id@ == k
}

proof fn lemma_album_plays_count(
    s: Seq<Scrobble>,
    tracks: Map<Seq<char>, SongData>,
    selection: Option<Seq<String>>,
    k: Seq<char>,
)
    ensures
        album_plays(s, tracks, selection).filter(with_key(k)).len() == s.filter(
            plays_album(tracks, selection, k),
        ).len(),
    decreases s.len(),
{
    if s.len() > 0 {
        let t = s.drop_last();
        let x = s.last();
        assert(s =~= t.push(x));
        lemma_album_plays_count(t, tracks, selection, k);
        t.lemma_filter_push(x, plays_album(tracks, selection, k));
        let id = x.media_file_id@;
        if tracks.contains_key(id) && album_selected(selection, tracks[id].album_id@) {
            let song = tracks[id];
            album_plays(t, tracks, selection).lemma_filter_push(
                Play {
                    key: song.album_id,
                    name: song.album,
                    artist: song.artist,
                    scrobble: (s.len() - 1) as usize,
                },
                with_key(k),
            );
        }
    }
}

proof fn lemma_filter_to_multiset<A>(s: Seq<A>, p: spec_fn(A) -> bool)
    ensures
        s.filter(p).to_multiset() =~= s.to_multiset().filter(p),
    decreases s.len(),
{
    broadcast use vstd::multiset::group_multiset_axioms;

    if s.len() > 0 {
        let t = s.drop_last();
        let x = s.last();
        assert(s =~= t.push(x));
        lemma_filter_to_multiset(t, p);
        t.lemma_filter_push(x, p);
        assert(s.to_multiset() =~= t.to_multiset().insert(x));
        if p(x) {
            assert(t.filter(p).push(x).to_multiset() =~= t.filter(p).to_multiset().insert(x));
        }
    } else {
        assert(s.filter(p) =~= s) by {
            reveal(Seq::filter);
        }
    }
}

proof fn lemma_filter_len_by_multiset<A>(s1: Seq<A>, s2: Seq<A>, p: spec_fn(A) -> bool)
    requires
        s1.to_multiset() == s2.to_multiset(),
    ensures
        s1.filter(p).len() == s2.filter(p).len(),
{
    lemma_filter_to_multiset(s1, p);
    lemma_filter_to_multiset(s2, p);
    s1.filter(p).to_multiset_ensures();
    s2.filter(p).to_multiset_ensures();
}

/// Whether an album passes a selection, as a predicate on album ids.
pub open spec fn in_selection(ids: Seq<String>) -> spec_fn(Seq<char>) -> bool {
    |k: Seq<char>| album_selected(Some(ids), k)
}

proof fn lemma_album_plays_selection(
    s: Seq<Scrobble>,
    tracks: Map<Seq<char>, SongData>,
    ids: Seq<String>,
)
    ensures
        album_plays(s, tracks, Some(ids)) == album_plays(s, tracks, None).filter(
            key_kept(in_selection(ids)),
        ),
    decreases s.len(),
{
    if s.len() == 0 {
        assert(album_plays(s, tracks, None).filter(key_kept(in_selection(ids))) =~= Seq::<
            Play,
        >::empty()) by {
            reveal(Seq::filter);
        }
    } else {
        let t = s.drop_last();
        lemma_album_plays_selection(t, tracks, ids);
        let id = s.last().media_file_id@;
        if tracks.contains_key(id) {
            let song = tracks[id];
            album_plays(t, tracks, None).lemma_filter_push(
                Play {
                    key: song.album_id,
                    name: song.album,
                    artist: song.artist,
                    scrobble: (s.len() - 1) as usize,
                },
                key_kept(in_selection(ids)),
            );
        }
    }
}

/// A selection of albums only drops whole albums: every album it keeps is
/// one of the unrestricted chart, with the same statistic, and every album
/// of the unrestricted chart that the selection names is kept.
pub proof fn law_selection_drops_whole_albums(
    scrobbles: Seq<Scrobble>,
    tracks: Map<Seq<char>, SongData>,
    ids: Seq<String>,
)
    ensures
        forall|i: int|
            0 <= i < grouped(album_plays(scrobbles, tracks, Some(ids))).len() ==> album_selected(
                Some(ids),
                #[trigger] grouped(album_plays(scrobbles, tracks, Some(ids)))[i].id,
            ) && exists|j: int|
                0 <= j < grouped(album_plays(scrobbles, tracks, None)).len() && grouped(
                    album_plays(scrobbles, tracks, None),
                )[j] == grouped(album_plays(scrobbles, tracks, Some(ids)))[i],
        forall|j: int|
            0 <= j < grouped(album_plays(scrobbles, tracks, None)).len() && album_selected(
                Some(ids),
                #[trigger] grouped(album_plays(scrobbles, tracks, None))[j].id,
            ) ==> exists|i: int|
                0 <= i < grouped(album_plays(scrobbles, tracks, Some(ids))).len() && grouped(
                    album_plays(scrobbles, tracks, Some(ids)),
                )[i] == grouped(album_plays(scrobbles, tracks, None))[j],
{
    let all = album_plays(scrobbles, tracks, None);
    let chosen = all.filter(key_kept(in_selection(ids)));
    lemma_album_plays_selection(scrobbles, tracks, ids);
    lemma_grouped_key_filter(all, in_selection(ids));
    assert forall|i: int| 0 <= i < grouped(chosen).len() implies album_selected(
        Some(ids),
        #[trigger] grouped(chosen)[i].id,
    ) && exists|j: int| 0 <= j < grouped(all).len() && grouped(all)[j] == grouped(chosen)[i] by {
        assert(in_selection(ids)(grouped(chosen)[i].id));
    }
    assert forall|j: int|
        0 <= j < grouped(all).len() && album_selected(
            Some(ids),
            #[trigger] grouped(all)[j].id,
        ) implies exists|i: int|
        0 <= i < grouped(chosen).len() && grouped(chosen)[i] == grouped(all)[j] by {
        assert(in_selection(ids)(grouped(all)[j].id));
    }
}

/// The order of the scrobbles does not change which albums the chart shows
/// nor how often each was played.
pub proof fn law_album_chart_ignores_order(
    scrobbles: Seq<Scrobble>,
    reordered: Seq<Scrobble>,
    tracks: Map<Seq<char>, SongData>,
    selection: Option<Seq<String>>,
)
    requires
        reordered.to_multiset() == scrobbles.to_multiset(),
    ensures
        forall|k: Seq<char>|
            #![trigger has_group(grouped(album_plays(scrobbles, tracks, selection)), k)]
            #![trigger has_group(grouped(album_plays(reordered, tracks, selection)), k)]
            has_group(grouped(album_plays(scrobbles, tracks, selection)), k) <==> has_group(
                grouped(album_plays(reordered, tracks, selection)),
                k,
            ),
        forall|i: int, j: int|
            0 <= i < grouped(album_plays(scrobbles, tracks, selection)).len() && 0 <= j < grouped(
                album_plays(reordered, tracks, selection),
            ).len() && #[trigger] grouped(album_plays(scrobbles, tracks, selection))[i].id
                == #[trigger] grouped(album_plays(reordered, tracks, selection))[j].id
                ==> grouped(album_plays(scrobbles, tracks, selection))[i].plays == grouped(
                album_plays(reordered, tracks, selection),
            )[j].plays,
{
    let c1 = album_plays(scrobbles, tracks, selection);
    let c2 = album_plays(reordered, tracks, selection);
    assert forall|k: Seq<char>| #[trigger] c1.filter(with_key(k)).len() == c2.filter(
        with_key(k),
    ).len() by {
        lemma_album_plays_count(scrobbles, tracks, selection, k);
        lemma_album_plays_count(reordered, tracks, selection, k);
        lemma_filter_len_by_multiset(scrobbles, reordered, plays_album(tracks, selection, k));
    }
    assert forall|k: Seq<char>| #[trigger] has_group(grouped(c1), k) <==> has_group(
        grouped(c2),
        k,
    ) by {
        lemma_group_of_key(c1, k);
        lemma_group_of_key(c2, k);
        assert(c1.filter(with_key(k)).len() == c2.filter(with_key(k)).len());
    }
    assert forall|i: int, j: int|
        0 <= i < grouped(c1).len() && 0 <= j < grouped(c2).len() && #[trigger] grouped(c1)[i].id
            == #[trigger] grouped(c2)[j].id implies grouped(c1)[i].plays == grouped(
        c2,
    )[j].plays by {
        let k = grouped(c1)[i].id;
        lemma_group_of_key(c1, k);
        lemma_group_of_key(c2, k);
        assert(c1.filter(with_key(k)).len() == c2.filter(with_key(k)).len());
    }
}

/// Whether play `p` comes from a scrobble of `scrobbles` whose track is
/// known and on a selected album, and shows that album.
spec fn play_of_album(
    scrobbles: Seq<Scrobble>,
    tracks: Map<Seq<char>, SongData>,
    selection: Option<Seq<String>>,
    p: Play,
) -> bool {
    let id = scrobbles[p.scrobble as int].media_file_id@;
    &&& p.scrobble < scrobbles.len()
    &&& plays_album(tracks, selection, p.key@)(scrobbles[p.scrobble as int])
    &&& p.name@ == tracks[id].album@
    &&& p.artist@ == tracks[id].artist@
}

/// Each play comes from a scrobble of its album, and the plays come in the
/// order of their scrobbles, one per scrobble of a selected album.
proof fn lemma_album_play_source(
    scrobbles: Seq<Scrobble>,
    tracks: Map<Seq<char>, SongData>,
    selection: Option<Seq<String>>,
)
    requires
        scrobbles.len() <= usize::MAX,
    ensures
        forall|k: int|
            0 <= k < album_plays(scrobbles, tracks, selection).len() ==> play_of_album(
                scrobbles,
                tracks,
                selection,
                #[trigger] album_plays(scrobbles, tracks, selection)[k],
            ),
        forall|k1: int, k2: int|
            0 <= k1 < k2 < album_plays(scrobbles, tracks, selection).len() ==> (#[trigger] album_plays(
                scrobbles,
                tracks,
                selection,
            )[k1]).scrobble < (#[trigger] album_plays(scrobbles, tracks, selection)[k2]).scrobble,
        forall|j: int|
            0 <= j < scrobbles.len() && tracks.contains_key(
                (#[trigger] scrobbles[j]).media_file_id@,
            ) && album_selected(selection, tracks[scrobbles[j].media_file_id@].album_id@)
                ==> exists|k: int|
                0 <= k < album_plays(scrobbles, tracks, selection).len() && (#[trigger] album_plays(
                    scrobbles,
                    tracks,
                    selection,
                )[k]).scrobble == j,
    decreases scrobbles.len(),
{
    if scrobbles.len() > 0 {
        let t = scrobbles.drop_last();
        let n = scrobbles.len() - 1;
        lemma_album_play_source(t, tracks, selection);
        let e = album_plays(t, tracks, selection);
        let c = album_plays(scrobbles, tracks, selection);
        assert(scrobbles.last() == scrobbles[n]);
        assert forall|k: int| 0 <= k < c.len() implies play_of_album(
            scrobbles,
            tracks,
            selection,
            #[trigger] c[k],
        ) by {
            if k < e.len() {
                assert(c[k] == e[k]);
                assert(play_of_album(t, tracks, selection, e[k]));
                assert(scrobbles[e[k].scrobble as int] == t[e[k].scrobble as int]);
            }
        }
        assert forall|k1: int, k2: int| 0 <= k1 < k2 < c.len() implies (#[trigger] c[k1]).scrobble
            < (#[trigger] c[k2]).scrobble by {
            assert(c[k1] == e[k1]);
            if k2 < e.len() {
                assert(c[k2] == e[k2]);
            } else {
                assert(play_of_album(t, tracks, selection, e[k1]));
            }
        }
        assert forall|j: int|
            0 <= j < scrobbles.len() && tracks.contains_key(
                (#[trigger] scrobbles[j]).media_file_id@,
            ) && album_selected(selection, tracks[scrobbles[j].media_file_id@].album_id@)
            implies exists|k: int| 0 <= k < c.len() && (#[trigger] c[k]).scrobble == j by {
            if j < n {
                assert(t[j] == scrobbles[j]);
                let k = choose|k: int| 0 <= k < e.len() && (#[trigger] e[k]).scrobble == j;
                assert(c[k] == e[k]);
            } else {
                assert(c[e.len() as int].scrobble == j);
            }
        }
    }
}

/// Each entry of the album chart is an album that was played: its name and
/// artist are those of the track of the first scrobble of the album (where
/// the track is known and, given a selection, its album selected); it
/// counts exactly those scrobbles, and each of its scrobble positions is
/// one of them.
pub proof fn law_album_chart_shows_first_play(
    scrobbles: Seq<Scrobble>,
    tracks: Map<Seq<char>, SongData>,
    selection: Option<Seq<String>>,
    i: int,
)
    requires
        scrobbles.len() <= usize::MAX,
        0 <= i < grouped(album_plays(scrobbles, tracks, selection)).len(),
    ensures
        ({
            let g = grouped(album_plays(scrobbles, tracks, selection))[i];
            exists|j: int|
                0 <= j < scrobbles.len() && plays_album(tracks, selection, g.id)(
                    #[trigger] scrobbles[j],
                ) && tracks[scrobbles[j].media_file_id@].album@ == g.name
                    && tracks[scrobbles[j].media_file_id@].artist@ == g.artist && forall|j2: int|
                    0 <= j2 < j ==> !plays_album(tracks, selection, g.id)(#[trigger] scrobbles[j2])
        }),
        ({
            let g = grouped(album_plays(scrobbles, tracks, selection))[i];
            forall|t: int|
                0 <= t < g.scrobbles.len() ==> #[trigger] g.scrobbles[t] < scrobbles.len()
                    && plays_album(tracks, selection, g.id)(scrobbles[g.scrobbles[t] as int])
        }),
        ({
            let g = grouped(album_plays(scrobbles, tracks, selection))[i];
            &&& g.plays == g.scrobbles.len()
            &&& g.plays == scrobbles.filter(plays_album(tracks, selection, g.id)).len()
        }),
{
    let c = album_plays(scrobbles, tracks, selection);
    let g = grouped(c)[i];
    lemma_group_origin(c, i);
    lemma_album_play_source(scrobbles, tracks, selection);
    lemma_album_plays_count(scrobbles, tracks, selection, g.id);
    let k = choose|k: int|
        0 <= k < c.len() && (#[trigger] c[k]).key@ == g.id && c[k].name@ == g.name
            && c[k].artist@ == g.artist && c[k].scrobble == g.scrobbles[0] && forall|k2: int|
            0 <= k2 < k ==> (#[trigger] c[k2]).key@ != g.id;
    assert(play_of_album(scrobbles, tracks, selection, c[k]));
    let j = c[k].scrobble as int;
    assert forall|j2: int| 0 <= j2 < j implies !plays_album(tracks, selection, g.id)(
        #[trigger] scrobbles[j2],
    ) by {
        if plays_album(tracks, selection, g.id)(scrobbles[j2]) {
            let k2 = choose|k2: int| 0 <= k2 < c.len() && (#[trigger] c[k2]).scrobble == j2;
            assert(play_of_album(scrobbles, tracks, selection, c[k2]));
            if k2 >= k {
                if k2 > k {
                    assert(c[k].scrobble < c[k2].scrobble);
                }
            }
        }
    }
    assert forall|t: int| 0 <= t < g.scrobbles.len() implies #[trigger] g.scrobbles[t]
        < scrobbles.len() && plays_album(tracks, selection, g.id)(
        scrobbles[g.scrobbles[t] as int],
    ) by {
        let k2 = choose|k2: int|
            0 <= k2 < c.len() && c[k2].key@ == g.id && c[k2].scrobble == #[trigger] g.scrobbles[t];
        assert(play_of_album(scrobbles, tracks, selection, c[k2]));
    }
}

/// A scrobble of a track the table does not know changes the chart in
/// nothing.
pub proof fn law_unknown_scrobble_changes_nothing(
    scrobbles: Seq<Scrobble>,
    extra: Scrobble,
    tracks: Map<Seq<char>, SongData>,
    selection: Option<Seq<String>>,
)
    requires
        !tracks.contains_key(extra.media_file_id@),
    ensures
        grouped(album_plays(scrobbles.push(extra), tracks, selection)) == grouped(
            album_plays(scrobbles, tracks, selection),
        ),
{
    assert(scrobbles.push(extra).drop_last() =~= scrobbles);
}

} // verus!
