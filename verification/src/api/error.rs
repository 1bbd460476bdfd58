use vstd::prelude::*;

use crate::navidrome::NavidromeSessionError;
use crate::storage::StorageError;

verus! {

/// What an endpoint answers when it refuses a request.
pub enum ApiError {
    NavidromeUnreachable(String),
    Internal(String),
    Unauthorized(String),
    BadRequest(String),
    DatabaseError(String),
}

/// An [`ApiError`] with its message as a sequence of characters.
pub enum ApiErrorView {
    NavidromeUnreachable(Seq<char>),
    Internal(Seq<char>),
    Unauthorized(Seq<char>),
    BadRequest(Seq<char>),
    DatabaseError(Seq<char>),
}

impl View for ApiError {
    type V = ApiErrorView;

    open spec fn view(&self) -> ApiErrorView {
        match self {
            ApiError::NavidromeUnreachable(m) => ApiErrorView::NavidromeUnreachable(m@),
            ApiError::Internal(m) => ApiErrorView::Internal(m@),
            ApiError::Unauthorized(m) => ApiErrorView::Unauthorized(m@),
            ApiError::BadRequest(m) => ApiErrorView::BadRequest(m@),
            ApiError::DatabaseError(m) => ApiErrorView::DatabaseError(m@),
        }
    }
}

impl ApiErrorView {
    /// The HTTP status code that answers the error.
    pub open spec fn status(self) -> u16 {
        match self {
            ApiErrorView::NavidromeUnreachable(_) => 400,
            ApiErrorView::Unauthorized(_) => 401,
            ApiErrorView::Internal(_) => 500,
            ApiErrorView::BadRequest(_) => 400,
            ApiErrorView::DatabaseError(_) => 500,
        }
    }

    /// The message sent back under `"error"`.
    pub open spec fn message(self) -> Seq<char> {
        match self {
            ApiErrorView::NavidromeUnreachable(m) => m,
            ApiErrorView::Unauthorized(m) => m,
            ApiErrorView::Internal(m) => m,
            ApiErrorView::BadRequest(m) => m,
            ApiErrorView::DatabaseError(m) => m,
        }
    }
}

/// `prefix` followed by `detail`, as a new string.
pub fn join_message(prefix: &str, detail: &str) -> (r: String)
    ensures
        r@ == prefix@ + detail@,
{
    let mut r = prefix.to_owned();
    r.append(detail);
    r
}

impl ApiError {
    /// What a relayed request answers when Navidrome cannot be reached.
    pub fn relay_failed() -> (r: ApiError)
        ensures
            r@ == ApiErrorView::NavidromeUnreachable("Failed to reach Navidrome"@),
    {
        ApiError::NavidromeUnreachable("Failed to reach Navidrome".to_owned())
    }

    /// What a login answers when its server cannot be recorded.
    pub fn domain_not_recorded() -> (r: ApiError)
        ensures
            r@ == ApiErrorView::DatabaseError("Could not add domain to database"@),
    {
        ApiError::DatabaseError("Could not add domain to database".to_owned())
    }

    /// What a request answers when its query string cannot be read.
    pub fn invalid_queries() -> (r: ApiError)
        ensures
            r@ == ApiErrorView::BadRequest("Invalid queries"@),
    {
        ApiError::BadRequest("Invalid queries".to_owned())
    }

    /// How an endpoint reports a failed session with Navidrome.
    pub fn from_session_error(value: NavidromeSessionError) -> (r: ApiError)
        ensures
            r@ == (match value {
                NavidromeSessionError::Reqwest(e) => ApiErrorView::Internal(
                    "Reqwest failed: "@ + e@,
                ),
                NavidromeSessionError::Unreachable(e) => ApiErrorView::NavidromeUnreachable(
                    "Navidrome could not be reached: "@ + e@,
                ),
                NavidromeSessionError::Unauthorized => ApiErrorView::Unauthorized(
                    "Invalid credentials"@,
                ),
                NavidromeSessionError::ParseJson(e) => ApiErrorView::Internal(
                    "Could not parse Navidrome's response: "@ + e@,
                ),
            }),
    {
        match value {
            NavidromeSessionError::Reqwest(e) => ApiError::Internal(
                join_message("Reqwest failed: ", e.as_str()),
            ),
            NavidromeSessionError::Unreachable(e) => ApiError::NavidromeUnreachable(
                join_message("Navidrome could not be reached: ", e.as_str()),
            ),
            NavidromeSessionError::Unauthorized => ApiError::Unauthorized(
                "Invalid credentials".to_owned(),
            ),
            NavidromeSessionError::ParseJson(e) => ApiError::Internal(
                join_message("Could not parse Navidrome's response: ", e.as_str()),
            ),
        }
    }

    /// How an endpoint reports a failed artist lookup.
    pub fn from_storage_error(value: StorageError) -> (r: ApiError)
        ensures
            r@ == (match value {
                StorageError::Reqwest(e) => ApiErrorView::Internal(
                    "Could not connect to MusicBrainz: "@ + e@,
                ),
                StorageError::ParseJson(e) => ApiErrorView::Internal(
                    "Could not parse MusicBrainz response: "@ + e@,
                ),
                StorageError::Rusqlite(e) => ApiErrorView::Internal(
                    "Internal database error: "@ + e@,
                ),
            }),
    {
        match value {
            StorageError::Reqwest(e) => ApiError::Internal(
                join_message("Could not connect to MusicBrainz: ", e.as_str()),
            ),
            StorageError::ParseJson(e) => ApiError::Internal(
                join_message("Could not parse MusicBrainz response: ", e.as_str()),
            ),
            StorageError::Rusqlite(e) => ApiError::Internal(
                join_message("Internal database error: ", e.as_str()),
            ),
        }
    }

    /// The status code and message of the response that reports this error.
    pub fn into_status_and_message(self) -> (r: (u16, String))
        ensures
            r.0 == self@.status(),
            r.1@ == self@.message(),
    {
        match self {
            ApiError::NavidromeUnreachable(m) => (400, m),
            ApiError::Unauthorized(m) => (401, m),
            ApiError::Internal(m) => (500, m),
            ApiError::BadRequest(m) => (400, m),
            ApiError::DatabaseError(m) => (500, m),
        }
    }
}

} // verus!
