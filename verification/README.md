# notes_kit

A verified library for publishing a directory of Org-mode notes named in the
Denote style (`20250107T123456==sig--title__type.org`): parsing names and
metadata, access control by signature and access level, search, the Atom
feed, the sitemap and the public corpus snapshot.

The library (`src/`) is written in Verus; every public function there
carries a contract over mathematical models (`Seq`, `Set`, `Map`), and all
of its code is proved against the contracts it calls. Calls into outside
crates (orgize, argon2, brotli, flate2, mime_guess) go through a few small
trusted wrappers whose contracts name what the outside code returns.

- `chars`, `text`, `date`, `unicode`: string scanning, Org text helpers and
  date formatting.
- `denote`, `metadata`, `format`, `models`: file names, identifiers,
  metadata and the note model.
- `auth`, `repository`, `cache`, `assets`, `error`: the authorization
  policy, the note and asset repositories and their cache.
- `search`, `compute`, `order`, `strmap`, `links`, `pages`, `session`:
  search, id maps, backlinks, grouping, sorting, link resolution, note pages
  and the reader's sign-in state.
- `feed`, `sitemap`, `snapshot`, `serve`, `backfill`: the public artifacts
  and the decisions of the HTTP handlers and of the reader's corpus backfill.
- `storage`, `watch`, `users`, `config`, `tasks`: storage paths, ranges and
  listing hashes, the cache-refresh decisions, accounts and password checks,
  server settings, clocked time.

Laws that span several functions are public proof functions (`lemma_*`),
among them: parsing a written file name gives its parts back; an anonymous
reader under the default policy sees public notes only, and so do the feed,
the sitemap and the public snapshot; a cache read gives back what was last
written; listing hashes do not depend on listing order; publishing a
snapshot keeps the previous one reachable.

`app/` holds the unverified edges: reading configuration and files,
serialization, and the route handlers that hand plain values to the
library.
