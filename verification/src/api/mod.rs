pub mod error;

use std::collections::HashMap;
use vstd::prelude::*;

use crate::api::error::{ApiError, ApiErrorView};
use crate::util::{get_param_default, param_or_default};

verus! {

broadcast use vstd::std_specs::hash::group_hash_axioms;

/// A closed interval `start..=end`.
pub struct Range<T> {
    pub start: T,
    pub end: T,
}

impl Range<u64> {
    /// Whether `other` lies in the interval, both ends included.
    pub open spec fn spec_contains(&self, other: u64) -> bool {
        self.start <= other && other <= self.end
    }

    pub fn contains(&self, other: &u64) -> (r: bool)
        ensures
            r == self.spec_contains(*other),
    {
        (self.start <= *other) && (self.end >= *other)
    }

    /// The interval a request names with its query parameters `a` and `b`;
    /// a bound that is missing or does not parse is the type's extreme.
    pub fn from_query(params: &Vec<(String, String)>) -> (r: Range<u64>)
        ensures
            r.start == param_or_default(params@, "a"@, 0u64),
            r.end == param_or_default(params@, "b"@, u64::MAX),
    {
        let start = get_param_default(params, "a", 0u64);
        let end = get_param_default(params, "b", u64::MAX);
        Range { start, end }
    }
}

/// The logged-in sessions, by the 128-bit value of their token.
pub struct SessionStore<S> {
    sessions: HashMap<u128, S>,
}

impl<S> View for SessionStore<S> {
    type V = Map<u128, S>;

    closed spec fn view(&self) -> Map<u128, S> {
        self.sessions@
    }
}

impl<S> SessionStore<S> {
    pub fn new() -> (r: Self)
        ensures
            r@ == Map::<u128, S>::empty(),
    {
        SessionStore { sessions: HashMap::new() }
    }

    /// Records `session` under `token`, replacing any session it had.
    pub fn insert(&mut self, token: u128, session: S)
        ensures
            final(self)@ == old(self)@.insert(token, session),
    {
        self.sessions.insert(token, session);
    }

    pub fn contains(&self, token: u128) -> (r: bool)
        ensures
            r == self@.contains_key(token),
    {
        self.sessions.contains_key(&token)
    }

    pub fn get(&self, token: u128) -> (r: Option<&S>)
        ensures
            match r {
                Some(s) => self@.contains_key(token) && *s == self@[token],
                None => !self@.contains_key(token),
            },
    {
        self.sessions.get(&token)
    }

    /// The session of `token`, or the error that an endpoint answers when the
    /// token has none.
    pub fn session(&self, token: u128) -> (r: Result<&S, ApiError>)
        ensures
            match r {
                Ok(s) => self@.contains_key(token) && *s == self@[token],
                Err(e) => !self@.contains_key(token) && e@ == ApiErrorView::Internal(
                    "Could not find token"@,
                ),
            },
    {
        match self.sessions.get(&token) {
            Some(s) => Ok(s),
            None => Err(ApiError::Internal("Could not find token".to_owned())),
        }
    }
}

/// A session that was stored is found again under its token, and storing it
/// leaves every other token's session as it was.
pub proof fn law_session_store_read_after_write<S>(
    before: Map<u128, S>,
    after: Map<u128, S>,
    token: u128,
    session: S,
    other: u128,
)
    requires
        after == before.insert(token, session),
        other != token,
    ensures
        after.contains_key(token),
        after[token] == session,
        after.contains_key(other) == before.contains_key(other),
        before.contains_key(other) ==> after[other] == before[other],
{
}

} // verus!
