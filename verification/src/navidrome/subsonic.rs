use rand::{RngExt, SeedableRng};
use vstd::prelude::*;

use crate::handlers::LoginRequest;
use crate::util::push_char;

verus! {

broadcast use vstd::seq_lib::group_seq_properties;

/// The client name that the backend gives to Navidrome's Subsonic API.
pub const APP_NAME: &'static str = "Navalyze";

/// The Subsonic API version that the backend speaks.
pub const API_VERSION: &'static str = "1.8.0";

/// A character from `A-Z`, `a-z` or `0-9`.
pub open spec fn is_alphanumeric(c: char) -> bool {
    ('A' <= c && c <= 'Z') || ('a' <= c && c <= 'z') || ('0' <= c && c <= '9')
}

/// The MD5 digest of the UTF-8 bytes of `text`, written as 32 lower-case
/// hexadecimal digits.
pub uninterp spec fn md5_lower_hex(text: Seq<char>) -> Seq<char>;

/// Calls `md5::compute` and formats the digest with `{:x}`. The contract
/// names the result; of its form it states only the length, which the
/// digest's 16 bytes at two digits each give.
#[verifier::external_body]
fn md5_hex(text: &str) -> (r: String)
    ensures
        r@ == md5_lower_hex(text@),
        r@.len() == 32,
{
    format!("{:x}", md5::compute(text))
}

/// Seeds `rand::rngs::StdRng` from the operating system's random source with
/// `SeedableRng::try_from_rng(&mut SysRng)` and draws one character with
/// `rand::RngExt::sample` from the `Alphanumeric` distribution. Seeding fails
/// when the random source does; then the error's text comes back. Of the
/// random outcome the contract states only what the distribution's source
/// shows: a character of `A-Z`, `a-z` or `0-9`.
#[verifier::external_body]
fn random_alphanumeric() -> (r: Result<char, String>)
    ensures
        r matches Ok(c) ==> is_alphanumeric(c),
{
    match rand::rngs::StdRng::try_from_rng(&mut rand::rngs::SysRng) {
        Ok(mut rng) => Ok(rng.sample(rand::distr::Alphanumeric) as char),
        Err(e) => Err(e.to_string()),
    }
}

/// The credentials of a Subsonic session: a random salt, the token that
/// hashes the password with it, and the query parameters of every request.
pub struct SubsonicAuth {
    pub default_params: Vec<(String, String)>,
    pub salt: String,
    pub token: String,
}

/// What fresh credentials for `login_request` are, given their salt.
pub open spec fn is_subsonic_auth(a: SubsonicAuth, login_request: LoginRequest) -> bool {
    &&& a.salt@.len() == 8
    &&& forall|i: int| 0 <= i < 8 ==> is_alphanumeric(#[trigger] a.salt@[i])
    &&& a.token@ == md5_lower_hex(login_request.password@ + a.salt@)
    &&& a.token@.len() == 32
    &&& a.default_params@.len() == 5
    &&& a.default_params@[0].0@ == "u"@ && a.default_params@[0].1@ == login_request.username@
    &&& a.default_params@[1].0@ == "s"@ && a.default_params@[1].1@ == a.salt@
    &&& a.default_params@[2].0@ == "t"@ && a.default_params@[2].1@ == a.token@
    &&& a.default_params@[3].0@ == "c"@ && a.default_params@[3].1@ == APP_NAME@
    &&& a.default_params@[4].0@ == "v"@ && a.default_params@[4].1@ == API_VERSION@
}

impl SubsonicAuth {
    /// Fresh credentials for the user of `login_request`. The only failure
    /// is that of the random source, whose error text comes back.
    pub fn new(login_request: &LoginRequest) -> (r: Result<SubsonicAuth, String>)
        ensures
            r matches Ok(a) ==> is_subsonic_auth(a, *login_request),
    {
        let mut salt = String::new();
        for i in 0..8usize
            invariant
                salt@.len() == i,
                forall|k: int| 0 <= k < i ==> is_alphanumeric(#[trigger] salt@[k]),
        {
            let c = match random_alphanumeric() {
                Ok(c) => c,
                Err(e) => {
                    return Err(e);
                },
            };
            push_char(&mut salt, c);
        }
        let mut salted = login_request.password.clone();
        salted.append(salt.as_str());
        let hash = md5_hex(salted.as_str());
        let mut default_params: Vec<(String, String)> = Vec::new();
        default_params.push(("u".to_owned(), login_request.username.clone()));
        default_params.push(("s".to_owned(), salt.clone()));
        default_params.push(("t".to_owned(), hash.clone()));
        default_params.push(("c".to_owned(), APP_NAME.to_owned()));
        default_params.push(("v".to_owned(), API_VERSION.to_owned()));
        Ok(SubsonicAuth { default_params, salt, token: hash })
    }
}

} // verus!
