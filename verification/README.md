# navalyze

Listening statistics for a Navidrome music server.

- `src/` is the verified library: query-parameter parsing, time ranges,
  scrobble filtering, the track table of a session, the grouping of plays
  into album, track and artist charts, an artist's page, login and
  authorization decisions, the error responses, the Subsonic credentials,
  the statements of the backend's own database and the decisions of an
  artist lookup.
- `app/` is the HTTP server around it: argument handling, the Navidrome,
  Subsonic and MusicBrainz requests, the SQLite connections, JSON, and the
  played-hours sums, which are floating point.
- `tests/` runs the library on concrete values.
