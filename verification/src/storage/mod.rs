use vstd::prelude::*;

use crate::mbz::{MbzArtist, MbzError};

verus! {

/// Why an artist could not be looked up; each error carries the text of the
/// failure that caused it.
pub enum StorageError {
    Rusqlite(String),
    Reqwest(String),
    ParseJson(String),
}

/// The storage error that reports a MusicBrainz error.
pub open spec fn storage_error_of(value: MbzError) -> StorageError {
    match value {
        MbzError::ParseJson(e) => StorageError::ParseJson(e),
        MbzError::Reqwest(e) => StorageError::Reqwest(e),
    }
}

impl vstd::std_specs::convert::FromSpecImpl<MbzError> for StorageError {
    open spec fn obeys_from_spec() -> bool {
        true
    }

    open spec fn from_spec(value: MbzError) -> StorageError {
        storage_error_of(value)
    }
}

impl From<MbzError> for StorageError {
    fn from(value: MbzError) -> (r: StorageError) {
        match value {
            MbzError::ParseJson(e) => StorageError::ParseJson(e),
            MbzError::Reqwest(e) => StorageError::Reqwest(e),
        }
    }
}

/// What an artist lookup does once the cache has answered.
pub enum CacheDecision {
    /// The cache holds the artist, as this JSON text.
    UseCached(String),
    /// The cache does not hold the artist; ask MusicBrainz and store the answer.
    Fetch,
    /// The cache does not hold the artist and MusicBrainz is not configured.
    NotFound,
    Failed(StorageError),
}

/// The decision after the cache lookup: a database error ends the lookup,
/// a cached artist is used, and otherwise MusicBrainz is asked if there is
/// a session with it.
pub fn after_cache_lookup(cached: Result<Option<String>, String>, mbz_configured: bool) -> (r:
    CacheDecision)
    ensures
        match cached {
            Err(e) => r matches CacheDecision::Failed(StorageError::Rusqlite(m)) && m == e,
            Ok(Some(json)) => r matches CacheDecision::UseCached(j) && j == json,
            Ok(None) => if mbz_configured {
                r is Fetch
            } else {
                r is NotFound
            },
        },
{
    match cached {
        Err(e) => CacheDecision::Failed(StorageError::Rusqlite(e)),
        Ok(Some(json)) => CacheDecision::UseCached(json),
        Ok(None) => if mbz_configured {
            CacheDecision::Fetch
        } else {
            CacheDecision::NotFound
        },
    }
}

/// The result of a lookup that used the cache: the parsed artist, or the
/// parse error.
pub fn after_cached_parse(parsed: Result<MbzArtist, String>) -> (r: Result<
    Option<MbzArtist>,
    StorageError,
>)
    ensures
        match parsed {
            Ok(a) => r == Ok::<Option<MbzArtist>, StorageError>(Some(a)),
            Err(e) => r matches Err(StorageError::ParseJson(m)) && m == e,
        },
{
    match parsed {
        Ok(a) => Ok(Some(a)),
        Err(e) => Err(StorageError::ParseJson(e)),
    }
}

/// The result of a lookup that asked MusicBrainz: the artist it reported,
/// whatever became of storing it, or its error.
pub fn after_fetch(fetched: Result<MbzArtist, MbzError>) -> (r: Result<
    Option<MbzArtist>,
    StorageError,
>)
    ensures
        match fetched {
            Ok(a) => r == Ok::<Option<MbzArtist>, StorageError>(Some(a)),
            Err(e) => r == Err::<Option<MbzArtist>, StorageError>(storage_error_of(e)),
        },
{
    match fetched {
        Ok(a) => Ok(Some(a)),
        Err(e) => Err(StorageError::from(e)),
    }
}

} // verus!
