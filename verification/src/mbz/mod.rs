use vstd::prelude::*;

use crate::ids::{uuid_text, uuid_to_string};

verus! {

/// What MusicBrainz reports of an artist.
#[derive(Clone)]
pub struct MbzArtist {
    pub gender: Option<String>,
    pub artist_type: String,
}

/// Why MusicBrainz could not be asked; each error carries the text of the
/// failure that caused it.
pub enum MbzError {
    Reqwest(String),
    ParseJson(String),
}

/// The address of ListenBrainz's API.
pub const MBZ_URL: &'static str = "https://api.listenbrainz.org/1";

/// The request for the MusicBrainz metadata of an artist.
pub fn artist_metadata_url(id: u128) -> (r: String)
    ensures
        r@ == MBZ_URL@ + "/metadata/artist?artist_mbids="@ + uuid_text(id) + "&inc=artist"@,
{
    let mut url = MBZ_URL.to_owned();
    url.append("/metadata/artist?artist_mbids=");
    let id_text = uuid_to_string(id);
    url.append(id_text.as_str());
    url.append("&inc=artist");
    url
}

/// The header value that authorizes requests to ListenBrainz with a token.
pub fn token_header(token: u128) -> (r: String)
    ensures
        r@ == "Token "@ + uuid_text(token),
{
    let mut r = "Token ".to_owned();
    let text = uuid_to_string(token);
    r.append(text.as_str());
    r
}

/// The entry of a metadata response that describes the artist: the first
/// element of the array that MusicBrainz answers.
pub fn first_metadata_entry<T>(entries: Option<Vec<T>>) -> (r: Result<T, MbzError>)
    ensures
        match entries {
            None => r matches Err(MbzError::ParseJson(m)) && m@ == "Mbz response is not an array"@,
            Some(v) => if v@.len() == 0 {
                r matches Err(MbzError::ParseJson(m)) && m@ == "Mbz response is empty"@
            } else {
                r matches Ok(x) && x == v@[0]
            },
        },
{
    let mut entries = match entries {
        Some(v) => v,
        None => {
            return Err(MbzError::ParseJson("Mbz response is not an array".to_owned()));
        },
    };
    if entries.len() == 0 {
        return Err(MbzError::ParseJson("Mbz response is empty".to_owned()));
    }
    Ok(entries.remove(0))
}

} // verus!
