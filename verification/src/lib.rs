//! Listening statistics for a Navidrome music server: the decisions and
//! aggregations behind the backend's HTTP endpoints.
pub mod analysis;
pub mod api;
pub mod handlers;
pub mod ids;
pub mod mbz;
pub mod navidrome;
pub mod sqlite;
pub mod storage;
pub mod util;
