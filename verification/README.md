# TrackLog

TrackLog keeps a local catalog of songs (tracks) and of the releases
(albums, EPs, singles) they are gathered in, with backups to a folder or to
Google Drive.

The crate is a Verus library; its rules are stated as contracts and proved.

- `src/db/` — the catalog: its three tables and their consistency rules
  (`store`), validation, creating, editing and deleting tracks and
  releases, placing tracks in releases and reordering them (`placement`),
  the listings, search and dashboard (`queries`), schema versions
  (`migrations`), facts about ordered lists (`listing`), and the laws that
  relate the operations and the listings (`laws`).
- `src/clock.rs` — the current UTC time and the two forms it is written in.
- `src/text.rs`, `src/like.rs` — trimming, text order, and SQL `LIKE`
  matching as the search uses it.
- `src/fs.rs`, `src/backup.rs` — where files live, file names, portable
  paths, backup settings and archive entry names.
- `src/oauth.rs`, `src/flows.rs` — the Google Drive connection: PKCE,
  the authorization request and callback, the authorizations under way,
  token renewal, and the Drive queries.
- `app/` — ordinary Rust around the library: the SQLite file, archives,
  HTTP, the browser and the local listener, and the commands the user
  interface calls.
