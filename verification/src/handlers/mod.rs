use vstd::prelude::*;

use crate::api::error::{ApiError, ApiErrorView};
use crate::api::SessionStore;
use crate::ids::{ascii_bytes, lemma_uuid_text_bytes, parse_uuid, uuid_from_ascii, uuid_text};
use crate::navidrome::native::{SongData, TrackMap};
use crate::navidrome::Scrobble;
use crate::util::{param_or_default, parse_signed, parse_unsigned, query_lookup};

pub use crate::util::get_param_default;

verus! {

broadcast use vstd::seq_lib::group_seq_properties;

/// The body of a login request as the client sends it.
pub struct RawLoginRequest {
    pub username: String,
    pub password: String,
    pub url: String,
}

/// A login request whose server URL has no trailing slash.
pub struct LoginRequest {
    pub username: String,
    pub password: String,
    pub url: String,
}

/// `s` without the slashes at its end, as `trim_end_matches('/')` gives it.
pub open spec fn trim_trailing_slashes(s: Seq<char>) -> Seq<char>
    decreases s.len(),
{
    if s.len() > 0 && s.last() == '/' {
        trim_trailing_slashes(s.drop_last())
    } else {
        s
    }
}

/// `url` without the slashes at its end.
pub fn trim_end_slashes(url: &str) -> (r: String)
    ensures
        r@ == trim_trailing_slashes(url@),
{
    let mut n = url.unicode_len();
    assert(url@.take(n as int) =~= url@);
    while n > 0 && url.get_char(n - 1) == '/'
        invariant
            n <= url@.len(),
            trim_trailing_slashes(url@) == trim_trailing_slashes(url@.take(n as int)),
        decreases n,
    {
        assert(url@.take(n as int).drop_last() =~= url@.take(n - 1));
        n = n - 1;
    }
    url.substring_char(0, n).to_owned()
}

/// Trimming twice trims no more than trimming once; what is left does not
/// end with a slash, and the input is what is left followed by slashes.
pub proof fn law_trim_trailing_slashes(s: Seq<char>)
    ensures
        trim_trailing_slashes(trim_trailing_slashes(s)) == trim_trailing_slashes(s),
        trim_trailing_slashes(s).len() <= s.len(),
        trim_trailing_slashes(s).len() == 0 || trim_trailing_slashes(s).last() != '/',
        trim_trailing_slashes(s) == s.take(trim_trailing_slashes(s).len() as int),
        forall|i: int|
            trim_trailing_slashes(s).len() <= i < s.len() ==> #[trigger] s[i] == '/',
    decreases s.len(),
{
    if s.len() > 0 && s.last() == '/' {
        law_trim_trailing_slashes(s.drop_last());
        let t = trim_trailing_slashes(s);
        assert(t.len() <= s.drop_last().len());
        assert(s.drop_last().take(t.len() as int) =~= s.take(t.len() as int));
        assert forall|i: int| t.len() <= i < s.len() implies #[trigger] s[i] == '/' by {
            if i < s.len() - 1 {
                assert(s.drop_last()[i] == '/');
            }
        }
    } else {
        assert(s.take(s.len() as int) =~= s);
    }
}

impl LoginRequest {
    pub fn from_raw(value: RawLoginRequest) -> (r: LoginRequest)
        ensures
            r.username == value.username,
            r.password == value.password,
            r.url@ == trim_trailing_slashes(value.url@),
    {
        LoginRequest {
            username: value.username,
            password: value.password,
            url: trim_end_slashes(value.url.as_str()),
        }
    }
}

/// A byte that a header value may hold and still be read as text: visible
/// ASCII or a tab.
pub open spec fn is_visible_ascii(b: u8) -> bool {
    (32 <= b && b < 127) || b == 9
}

pub open spec fn is_header_text(bytes: Seq<u8>) -> bool {
    forall|i: int| 0 <= i < bytes.len() ==> is_visible_ascii(#[trigger] bytes[i])
}

/// The session token that a request presents, or why it is refused.
pub open spec fn authorization(header: Option<Seq<u8>>, sessions: Set<u128>) -> Result<
    u128,
    ApiErrorView,
> {
    match header {
        None => Err(ApiErrorView::Unauthorized("Missing Authorization header"@)),
        Some(bytes) => if !is_header_text(bytes) {
            Err(ApiErrorView::Unauthorized("Invalid Authorization header"@))
        } else {
            match uuid_from_ascii(bytes) {
                None => Err(ApiErrorView::Unauthorized("Authorization header is not and UUID"@)),
                Some(token) => if sessions.contains(token) {
                    Ok(token)
                } else {
                    Err(ApiErrorView::Unauthorized("You don't have permission to access this"@))
                },
            }
        },
    }
}

/// Once a session is stored under a token, a request that presents the
/// token as header text is admitted with it.
pub proof fn law_stored_session_is_admitted<S>(
    header: Seq<u8>,
    sessions: Map<u128, S>,
    token: u128,
    session: S,
)
    requires
        is_header_text(header),
        uuid_from_ascii(header) == Some(token),
    ensures
        authorization(Some(header), sessions.insert(token, session).dom()) == Ok::<
            u128,
            ApiErrorView,
        >(token),
{
}

/// No request is admitted with a token that has no session.
pub proof fn law_only_stored_tokens_are_admitted(header: Option<Seq<u8>>, sessions: Set<u128>)
    ensures
        authorization(header, sessions) matches Ok(token) ==> sessions.contains(token),
{
}

/// A request that presented the token of a session.
pub struct Auth {
    pub uuid: u128,
}

pub open spec fn auth_result_view(r: Result<Auth, ApiError>) -> Result<u128, ApiErrorView> {
    match r {
        Ok(a) => Ok(a.uuid),
        Err(e) => Err(e@),
    }
}

fn is_header_bytes(bytes: &[u8]) -> (r: bool)
    ensures
        r == is_header_text(bytes@),
{
    let mut i: usize = 0;
    while i < bytes.len()
        invariant
            i <= bytes@.len(),
            forall|k: int| 0 <= k < i ==> is_visible_ascii(#[trigger] bytes@[k]),
        decreases bytes@.len() - i,
    {
        let b = bytes[i];
        if !((32 <= b && b < 127) || b == 9) {
            return false;
        }
        i = i + 1;
    }
    true
}

impl Auth {
    /// Admits a request whose `Authorization` header holds the token of a
    /// stored session.
    pub fn authorize<S>(header: Option<&[u8]>, sessions: &SessionStore<S>) -> (r: Result<
        Auth,
        ApiError,
    >)
        ensures
            auth_result_view(r) == authorization(
                match header {
                    Some(b) => Some(b@),
                    None => None,
                },
                sessions@.dom(),
            ),
            forall|v: u128|
                (header matches Some(b) && b@ == #[trigger] ascii_bytes(uuid_text(v)))
                    && sessions@.contains_key(v) ==> (r matches Ok(a) && a.uuid == v),
    {
        proof {
            assert forall|v: u128| #[trigger]
                is_header_text(ascii_bytes(uuid_text(v))) by {
                lemma_uuid_text_bytes(v);
            }
        }
        let bytes = match header {
            None => {
                return Err(ApiError::Unauthorized("Missing Authorization header".to_owned()));
            },
            Some(v) => v,
        };
        if !is_header_bytes(bytes) {
            return Err(ApiError::Unauthorized("Invalid Authorization header".to_owned()));
        }
        let uuid = match parse_uuid(bytes) {
            Some(v) => v,
            None => {
                return Err(
                    ApiError::Unauthorized("Authorization header is not and UUID".to_owned()),
                );
            },
        };
        if sessions.contains(uuid) {
            Ok(Auth { uuid })
        } else {
            Err(ApiError::Unauthorized("You don't have permission to access this".to_owned()))
        }
    }
}

/// How many of `count` statistics a most-played list shows: the `limit`
/// parameter, all of them by default; a limit above the count shows one
/// fewer than the count.
pub open spec fn most_played_count(params: Seq<(String, String)>, count: usize) -> usize {
    let requested = param_or_default(params, "limit"@, count);
    if requested > count {
        (count - 1) as usize
    } else {
        requested
    }
}

/// A limit that parses to a number no greater than the count shows that
/// many statistics; one above the count shows one fewer than the count.
pub proof fn law_most_played_limit_honoured(
    params: Seq<(String, String)>,
    count: usize,
    text: Seq<char>,
    n: nat,
)
    requires
        query_lookup(params, "limit"@) == Some(text),
        parse_unsigned(text) == Some(n),
    ensures
        n <= count ==> most_played_count(params, count) == n,
        0 < count < n <= usize::MAX ==> most_played_count(params, count) == count - 1,
{
}

/// Without a limit that parses to a `usize`, all statistics are shown.
pub proof fn law_most_played_shows_all_by_default(params: Seq<(String, String)>, count: usize)
    requires
        match query_lookup(params, "limit"@) {
            None => true,
            Some(text) => match parse_unsigned(text) {
                None => true,
                Some(n) => n > usize::MAX,
            },
        },
    ensures
        most_played_count(params, count) == count,
{
}

pub fn most_played_limit(params: &Vec<(String, String)>, count: usize) -> (r: usize)
    requires
        count > 0 || param_or_default(params@, "limit"@, count) == 0,
    ensures
        r == most_played_count(params@, count),
        r <= count,
{
    let mut limit = get_param_default(params, "limit", count);
    if limit > count {
        limit = count - 1;
    }
    limit
}

/// A recently played track.
pub struct RecentPlay {
    pub title: String,
    pub artist: String,
    pub album: String,
}

pub struct RecentPlayView {
    pub title: Seq<char>,
    pub artist: Seq<char>,
    pub album: Seq<char>,
}

impl View for RecentPlay {
    type V = RecentPlayView;

    open spec fn view(&self) -> RecentPlayView {
        RecentPlayView { title: self.title@, artist: self.artist@, album: self.album@ }
    }
}

/// The scrobbles from position `offset` on, at most `limit` of them.
pub open spec fn window(scrobbles: Seq<Scrobble>, offset: int, limit: int) -> Seq<Scrobble> {
    if offset >= scrobbles.len() {
        Seq::empty()
    } else if offset + limit >= scrobbles.len() {
        scrobbles.subrange(offset, scrobbles.len() as int)
    } else {
        scrobbles.subrange(offset, offset + limit)
    }
}

/// The window starts at the offset: it holds the scrobbles from there on,
/// as many as the limit allows, and none where the offset is past the end.
pub proof fn law_window_starts_at_offset(scrobbles: Seq<Scrobble>, offset: int, limit: int)
    requires
        0 <= offset,
        0 <= limit,
    ensures
        window(scrobbles, offset, limit).len() == (if offset >= scrobbles.len() {
            0
        } else if limit < scrobbles.len() - offset {
            limit
        } else {
            scrobbles.len() - offset
        }),
        forall|i: int|
            0 <= i < window(scrobbles, offset, limit).len() ==> #[trigger] window(
                scrobbles,
                offset,
                limit,
            )[i] == scrobbles[offset + i],
{
}

/// The tracks of the scrobbles whose track is known.
pub open spec fn recent_rows(scrobbles: Seq<Scrobble>, tracks: Map<Seq<char>, SongData>) -> Seq<
    RecentPlayView,
>
    decreases scrobbles.len(),
{
    if scrobbles.len() == 0 {
        Seq::empty()
    } else {
        let earlier = recent_rows(scrobbles.drop_last(), tracks);
        let id = scrobbles.last().media_file_id@;
        if tracks.contains_key(id) {
            earlier.push(
                RecentPlayView {
                    title: tracks[id].title@,
                    artist: tracks[id].artist@,
                    album: tracks[id].album@,
                },
            )
        } else {
            earlier
        }
    }
}

/// Whether the track of a scrobble is known.
pub open spec fn track_known(tracks: Map<Seq<char>, SongData>) -> spec_fn(Scrobble) -> bool {
    |x: Scrobble| tracks.contains_key(x.media_file_id@)
}

/// The rows of recent plays are the scrobbles whose track is known, in
/// order, each showing the title, artist and album of its track.
pub proof fn law_recent_rows_show_known_tracks(
    scrobbles: Seq<Scrobble>,
    tracks: Map<Seq<char>, SongData>,
)
    ensures
        recent_rows(scrobbles, tracks).len() == scrobbles.filter(track_known(tracks)).len(),
        forall|j: int|
            0 <= j < recent_rows(scrobbles, tracks).len() ==> ({
                let song = tracks[scrobbles.filter(track_known(tracks))[j].media_file_id@];
                #[trigger] recent_rows(scrobbles, tracks)[j] == RecentPlayView {
                    title: song.title@,
                    artist: song.artist@,
                    album: song.album@,
                }
            }),
    decreases scrobbles.len(),
{
    if scrobbles.len() > 0 {
        let t = scrobbles.drop_last();
        let x = scrobbles.last();
        assert(scrobbles =~= t.push(x));
        law_recent_rows_show_known_tracks(t, tracks);
        t.lemma_filter_push(x, track_known(tracks));
    }
}

/// The `limit` and `offset` of a request for recent plays: both parsed as
/// `i32`, 0 by default, and read as `usize`; a limit of 0 means `total`.
pub open spec fn recent_bounds(params: Seq<(String, String)>, total: usize) -> (usize, usize) {
    let limit = param_or_default(params, "limit"@, 0i32) as usize;
    let offset = param_or_default(params, "offset"@, 0i32) as usize;
    (if limit == 0 { total } else { limit }, offset)
}

/// A request for recent plays that names no limit and no offset asks for
/// `total` plays from the first on.
pub proof fn law_recent_bounds_by_default(params: Seq<(String, String)>, total: usize)
    requires
        query_lookup(params, "limit"@) is None,
        query_lookup(params, "offset"@) is None,
    ensures
        recent_bounds(params, total) == (total, 0usize),
{
}

/// A positive limit and a non-negative offset that a request names are
/// taken as they are.
pub proof fn law_recent_bounds_as_requested(
    params: Seq<(String, String)>,
    total: usize,
    key: Seq<char>,
    text: Seq<char>,
    n: int,
)
    requires
        key == "limit"@ || key == "offset"@,
        query_lookup(params, key) == Some(text),
        parse_signed(text) == Some(n),
        0 <= n <= i32::MAX,
        key == "limit"@ ==> n > 0,
    ensures
        key == "limit"@ ==> recent_bounds(params, total).0 == n,
        key == "offset"@ ==> recent_bounds(params, total).1 == n,
{
}

pub open spec fn recent_views(rows: Seq<RecentPlay>) -> Seq<RecentPlayView> {
    rows.map_values(|r: RecentPlay| r@)
}

/// The recently played tracks that a request asks for: the scrobbles of
/// its window whose track is known, in order.
pub fn recent_plays(
    params: &Vec<(String, String)>,
    total: usize,
    scrobbles: &Vec<Scrobble>,
    tracks: &TrackMap,
) -> (r: Vec<RecentPlay>)
    ensures
        recent_views(r@) == recent_rows(
            window(
                scrobbles@,
                recent_bounds(params@, total).1 as int,
                recent_bounds(params@, total).0 as int,
            ),
            tracks@,
        ),
{
    let mut limit = #[verifier::truncate] (get_param_default(params, "limit", 0i32) as usize);
    let offset = #[verifier::truncate] (get_param_default(params, "offset", 0i32) as usize);
    if limit == 0 {
        limit = total;
    }
    let n = scrobbles.len();
    let mut rows: Vec<RecentPlay> = Vec::new();
    if offset >= n {
        assert(recent_views(rows@) =~= Seq::<RecentPlayView>::empty());
        return rows;
    }
    let end: usize = if limit >= n - offset {
        n
    } else {
        offset + limit
    };
    let ghost w = window(scrobbles@, offset as int, limit as int);
    assert(w =~= scrobbles@.subrange(offset as int, end as int));
    let mut i = offset;
    assert(w.take(0) =~= Seq::<Scrobble>::empty());
    while i < end
        invariant
            offset <= i <= end <= n,
            n == scrobbles@.len(),
            w == scrobbles@.subrange(offset as int, end as int),
            recent_views(rows@) == recent_rows(w.take(i - offset), tracks@),
        decreases end - i,
    {
        let scrobble = &scrobbles[i];
        assert(w.take(i - offset + 1).drop_last() =~= w.take(i - offset));
        assert(w.take(i - offset + 1).last() == *scrobble);
        let ghost before = rows@;
        match tracks.get(&scrobble.media_file_id) {
            Some(song) => {
                rows.push(
                    RecentPlay {
                        title: song.title.clone(),
                        artist: song.artist.clone(),
                        album: song.album.clone(),
                    },
                );
                assert(recent_views(rows@) =~= recent_views(before).push(rows@.last()@));
            },
            None => {},
        }
        i = i + 1;
    }
    assert(w.take(w.len() as int) =~= w);
    rows
}

} // verus!
