pub mod native;
pub mod subsonic;

use vstd::prelude::*;

use crate::api::error::join_message;
use crate::api::Range;
use crate::util::{param_or_default, query_lookup, reversed};

verus! {

broadcast use vstd::seq_lib::group_seq_properties;

/// An artist as the library describes it: the Subsonic artist with the
/// albums of the native API.
pub struct Artist {
    pub id: String,
    pub name: String,
    /// The MusicBrainz identifier, as the 128-bit value of the UUID.
    pub music_brainz_id: Option<u128>,
    pub albums: Vec<Album>,
}

pub struct Album {
    pub id: String,
    pub name: String,
    pub year: u64,
}

/// An album as Navidrome's native API reports it.
pub struct AlbumData {
    pub id: String,
    pub name: String,
    pub year: u64,
}

/// An artist as Navidrome's Subsonic API reports it.
pub struct ResponseArtist {
    pub id: String,
    pub name: String,
    pub music_brainz_id: Option<u128>,
}

/// One play of a track by a user, as Navidrome records it.
#[derive(Clone)]
pub struct Scrobble {
    pub media_file_id: String,
    pub user_id: String,
    pub submission_time: u64,
}

/// Why a session with Navidrome could not be opened or used; each error
/// carries the text of the failure that caused it.
pub enum NavidromeSessionError {
    Reqwest(String),
    Unreachable(String),
    ParseJson(String),
    Unauthorized,
}

impl vstd::std_specs::convert::FromSpecImpl<AlbumData> for Album {
    open spec fn obeys_from_spec() -> bool {
        true
    }

    open spec fn from_spec(value: AlbumData) -> Album {
        Album { id: value.id, name: value.name, year: value.year }
    }
}

impl From<AlbumData> for Album {
    fn from(value: AlbumData) -> (r: Album) {
        Album { id: value.id, name: value.name, year: value.year }
    }
}

/// The albums of `albums`, field for field.
pub open spec fn albums_from_data(albums: Seq<AlbumData>) -> Seq<Album> {
    albums.map_values(|a: AlbumData| Album { id: a.id, name: a.name, year: a.year })
}

/// The albums keep their number and order, and each keeps its identifier,
/// name and year.
pub proof fn law_albums_field_for_field(albums: Seq<AlbumData>, i: int)
    requires
        0 <= i < albums.len(),
    ensures
        albums_from_data(albums).len() == albums.len(),
        albums_from_data(albums)[i].id == albums[i].id,
        albums_from_data(albums)[i].name == albums[i].name,
        albums_from_data(albums)[i].year == albums[i].year,
{
}

impl Artist {
    /// The artist with its albums, in the order the native API lists them.
    pub fn from_navidrome(artist: ResponseArtist, albums: Vec<AlbumData>) -> (r: Artist)
        ensures
            r.id == artist.id,
            r.name == artist.name,
            r.music_brainz_id == artist.music_brainz_id,
            r.albums@ == albums_from_data(albums@),
    {
        let ghost input = albums@;
        let mut taken: Vec<Album> = Vec::new();
        let mut reversed = reversed(albums);
        while reversed.len() > 0
            invariant
                taken@.len() + reversed@.len() == input.len(),
                forall|i: int|
                    0 <= i < reversed@.len() ==> #[trigger] reversed@[i] == input[input.len()
                        - 1 - i],
                taken@ == albums_from_data(input.take(taken@.len() as int)),
            decreases reversed.len(),
        {
            let a = reversed.pop().unwrap();
            let ghost k = taken@.len() as int;
            assert(a == input[k]);
            taken.push(Album::from(a));
            assert(input.take(k + 1) =~= input.take(k).push(input[k]));
        }
        assert(input.take(input.len() as int) =~= input);
        Artist {
            albums: taken,
            id: artist.id,
            music_brainz_id: artist.music_brainz_id,
            name: artist.name,
        }
    }
}

/// Whether a scrobble was submitted within `range`.
pub open spec fn in_range(range: Range<u64>) -> spec_fn(Scrobble) -> bool {
    |s: Scrobble| range.spec_contains(s.submission_time)
}

/// Whether a scrobble was made by `user_id`.
pub open spec fn by_user(user_id: Seq<char>) -> spec_fn(Scrobble) -> bool {
    |s: Scrobble| s.user_id@ == user_id
}

impl Scrobble {
    /// A scrobble from the columns of Navidrome's `scrobbles` table; the
    /// submission time is reinterpreted as unsigned, as `as u64` does.
    pub fn from_columns(media_file_id: String, user_id: String, submission_time: i64) -> (r:
        Scrobble)
        ensures
            r.media_file_id == media_file_id,
            r.user_id == user_id,
            r.submission_time == submission_time as u64,
    {
        Scrobble { media_file_id, user_id, submission_time: submission_time as u64 }
    }

    /// The scrobbles submitted within `range`, in their order.
    pub fn filter_range(scrobbles: &Vec<Scrobble>, range: Range<u64>) -> (r: Vec<&Scrobble>)
        ensures
            r@.unref() == scrobbles@.filter(in_range(range)),
    {
        let mut refs: Vec<&Scrobble> = Vec::new();
        let n = scrobbles.len();
        for i in 0..n
            invariant
                n == scrobbles@.len(),
                refs@.unref() == scrobbles@.take(i as int).filter(in_range(range)),
        {
            let scrobble = &scrobbles[i];
            assert(scrobbles@.take(i + 1) =~= scrobbles@.take(i as int).push(scrobbles@[i as int]));
            if range.contains(&scrobble.submission_time) {
                refs.push(scrobble);
            }
            proof {
                scrobbles@.take(i as int).lemma_filter_push(scrobbles@[i as int], in_range(range));
            }
            assert(refs@.unref() =~= scrobbles@.take(i + 1).filter(in_range(range)));
        }
        assert(scrobbles@.take(n as int) =~= scrobbles@);
        refs
    }

    /// The scrobbles made by `user_id`, in their order.
    pub fn of_user<'a>(scrobbles: &'a Vec<Scrobble>, user_id: &String) -> (r: Vec<&'a Scrobble>)
        ensures
            r@.unref() == scrobbles@.filter(by_user(user_id@)),
    {
        let mut refs: Vec<&Scrobble> = Vec::new();
        let n = scrobbles.len();
        for i in 0..n
            invariant
                n == scrobbles@.len(),
                refs@.unref() == scrobbles@.take(i as int).filter(by_user(user_id@)),
        {
            let scrobble = &scrobbles[i];
            assert(scrobbles@.take(i + 1) =~= scrobbles@.take(i as int).push(scrobbles@[i as int]));
            if scrobble.user_id == *user_id {
                refs.push(scrobble);
            }
            proof {
                scrobbles@.take(i as int).lemma_filter_push(scrobbles@[i as int], by_user(user_id@));
            }
            assert(refs@.unref() =~= scrobbles@.take(i + 1).filter(by_user(user_id@)));
        }
        assert(scrobbles@.take(n as int) =~= scrobbles@);
        refs
    }
}

proof fn lemma_filter_all_pass(s: Seq<Scrobble>, range: Range<u64>)
    requires
        forall|i: int| 0 <= i < s.len() ==> in_range(range)(#[trigger] s[i]),
    ensures
        s.filter(in_range(range)) == s,
    decreases s.len(),
{
    reveal(Seq::filter);
    if s.len() > 0 {
        lemma_filter_all_pass(s.drop_last(), range);
        assert(in_range(range)(s[s.len() - 1]));
        assert(s.drop_last().push(s.last()) =~= s);
    }
}

/// A filter keeps a scrobble exactly when the scrobble passes it.
proof fn lemma_filter_keeps_exactly(s: Seq<Scrobble>, p: spec_fn(Scrobble) -> bool, x: Scrobble)
    requires
        s.contains(x),
    ensures
        s.filter(p).contains(x) <==> p(x),
{
    if p(x) {
        let j = choose|j: int| 0 <= j < s.len() && s[j] == x;
        s.lemma_filter_contains(p, j);
    } else if s.filter(p).contains(x) {
        let k = choose|k: int| 0 <= k < s.filter(p).len() && s.filter(p)[k] == x;
        s.lemma_filter_pred(p, k);
    }
}

/// The range keeps a scrobble exactly when it was submitted no earlier than
/// the range's start and no later than its end, both ends included; the
/// user filter keeps exactly the scrobbles of the user.
pub proof fn law_scrobble_filters_keep_exactly(
    scrobbles: Seq<Scrobble>,
    range: Range<u64>,
    user_id: Seq<char>,
    x: Scrobble,
)
    requires
        scrobbles.contains(x),
    ensures
        scrobbles.filter(in_range(range)).contains(x) <==> range.start <= x.submission_time
            <= range.end,
        scrobbles.filter(by_user(user_id)).contains(x) <==> x.user_id@ == user_id,
{
    lemma_filter_keeps_exactly(scrobbles, in_range(range), x);
    lemma_filter_keeps_exactly(scrobbles, by_user(user_id), x);
}

/// A request that names neither end of the range sees every scrobble.
pub proof fn law_unbounded_range_keeps_every_scrobble(
    params: Seq<(String, String)>,
    scrobbles: Seq<Scrobble>,
)
    requires
        query_lookup(params, "a"@) is None,
        query_lookup(params, "b"@) is None,
    ensures
        scrobbles.filter(
            in_range(
                Range {
                    start: param_or_default(params, "a"@, 0u64),
                    end: param_or_default(params, "b"@, u64::MAX),
                },
            ),
        ) == scrobbles,
{
    let range = Range {
        start: param_or_default(params, "a"@, 0u64),
        end: param_or_default(params, "b"@, u64::MAX),
    };
    lemma_filter_all_pass(scrobbles, range);
}

/// The address of the native API's login.
pub fn login_url(url: &str) -> (r: String)
    ensures
        r@ == url@ + "/auth/login"@,
{
    join_message(url, "/auth/login")
}

/// The header value that authorizes native API requests with `token`.
pub fn bearer_header(token: &str) -> (r: String)
    ensures
        r@ == "Bearer "@ + token@,
{
    join_message("Bearer ", token)
}

/// The address of the native API's song list.
pub fn song_list_url(url: &str) -> (r: String)
    ensures
        r@ == url@ + "/api/song/"@,
{
    join_message(url, "/api/song/")
}

/// The address of the Subsonic API's ping.
pub fn ping_url(url: &str) -> (r: String)
    ensures
        r@ == url@ + "/rest/ping"@,
{
    join_message(url, "/rest/ping")
}

/// The Subsonic address that a relayed request with path `tail` goes to.
pub fn relay_url(url: &str, tail: &str) -> (r: String)
    ensures
        r@ == url@ + "/rest/"@ + tail@,
{
    let mut r = join_message(url, "/rest/");
    r.append(tail);
    r
}

/// Whether an HTTP status is a client or server error (400 to 599).
pub open spec fn is_error_status(status: u16) -> bool {
    400 <= status && status < 600
}

/// The outcome of a request to Navidrome: a transport failure makes the
/// server unreachable, an error status means the credentials were refused,
/// and any other status is kept.
pub fn validate_reqwest_response(response: Result<u16, String>) -> (r: Result<
    u16,
    NavidromeSessionError,
>)
    ensures
        match response {
            Err(e) => r matches Err(NavidromeSessionError::Unreachable(m)) && m == e,
            Ok(status) => if is_error_status(status) {
                r matches Err(NavidromeSessionError::Unauthorized)
            } else {
                r == Ok::<u16, NavidromeSessionError>(status)
            },
        },
{
    let status = match response {
        Ok(v) => v,
        Err(e) => {
            return Err(NavidromeSessionError::Unreachable(e));
        },
    };
    if 400 <= status && status < 600 {
        return Err(NavidromeSessionError::Unauthorized);
    }
    Ok(status)
}

} // verus!
