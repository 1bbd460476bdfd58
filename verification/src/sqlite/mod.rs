use vstd::prelude::*;

use crate::ids::{uuid_text, uuid_to_string};
use crate::util::{decimal_text, to_decimal};

verus! {

/// The backend's own database: the domains it has seen and the MusicBrainz
/// artists it has cached.
pub struct InternalDB {
    pub path: String,
}

/// The tables of the database, created when they do not exist yet.
pub const SCHEMA: &'static str = "
            CREATE TABLE IF NOT EXISTS domain (
                id INTEGER PRIMARY KEY,
                domain TEXT NOT NULL UNIQUE
            );

            CREATE TABLE IF NOT EXISTS artist (
                id TEXT NOT NULL UNIQUE,
                domain_id INTEGER NOT NULL,
                json TEXT NOT NULL,

                FOREIGN KEY (domain_id) REFERENCES domain(id)
            );";

impl InternalDB {
    pub fn new(path: String) -> (r: InternalDB)
        ensures
            r.path == path,
    {
        InternalDB { path }
    }

    /// The statement that records a domain.
    pub fn add_domain_sql(domain: &str) -> (r: String)
        ensures
            r@ == "\n            INSERT INTO domain (domain)\n            VALUES ('"@ + domain@
                + "')\n            "@,
    {
        let mut sql = "\n            INSERT INTO domain (domain)\n            VALUES ('".to_owned();
        sql.append(domain);
        sql.append("')\n            ");
        sql
    }

    /// The statement that caches the JSON text of an artist for a domain.
    pub fn add_artist_sql(domain_id: u64, artist_id: u128, json: &str) -> (r: String)
        ensures
            r@ == "\n            INSERT INTO artist (id, domain_id, json) VALUES ('"@ + uuid_text(
                artist_id,
            ) + "', "@ + decimal_text(domain_id as nat) + ", '"@ + json@ + "')\n        "@,
    {
        let mut sql = "\n            INSERT INTO artist (id, domain_id, json) VALUES ('".to_owned();
        let id_text = uuid_to_string(artist_id);
        let domain_text = to_decimal(domain_id);
        sql.append(id_text.as_str());
        sql.append("', ");
        sql.append(domain_text.as_str());
        sql.append(", '");
        sql.append(json);
        sql.append("')\n        ");
        sql
    }

    /// The statement that reads the cached JSON text of an artist for a
    /// domain.
    pub fn get_artist_sql(domain_id: u64, artist_id: u128) -> (r: String)
        ensures
            r@ == "\n            SELECT json FROM artist\n            WHERE domain_id="@ + decimal_text(
                domain_id as nat,
            ) + " AND id='"@ + uuid_text(artist_id) + "'\n            LIMIT 1\n        "@,
    {
        let mut sql = "\n            SELECT json FROM artist\n            WHERE domain_id=".to_owned();
        let domain_text = to_decimal(domain_id);
        let id_text = uuid_to_string(artist_id);
        sql.append(domain_text.as_str());
        sql.append(" AND id='");
        sql.append(id_text.as_str());
        sql.append("'\n            LIMIT 1\n        ");
        sql
    }
}

} // verus!
