# oxidarr

The indexer core of Oxidarr, an indexer manager for Sonarr and Radarr: the
Cardigann definition engine (templates, selectors, filters, category
tables, row and field extraction over HTML), the request builder and login
flows for Cardigann definitions, Newznab/Torznab feed reading, and the small
decisions of the HTTP, database and migration layers.

## Layout

- `src/` — the library, written in Verus. Every function carries a
  contract, and Verus proves the code against it. What outside crates
  compute (`scraper`, `quick_xml`, `regex`, `fancy_regex`, `chrono`, `url`,
  `encoding_rs`, `rand`) is reached through small trusted wrappers, each
  documented with what its contract claims of the crate; results that are
  functions of their arguments are named by uninterpreted spec functions.
  - `template`, `selector`, `filters`, `fuzzydate`, `netlayout`,
    `categories`, `catmap`, `pattern`: the Cardigann language.
  - `dom`, `engine`: an HTML document, what a compiled selector selects in
    it, and a definition's `search` block run over a response body.
  - `builder`, `query`, `login`, `client`, `urls`, `decode`: requests,
    logins, redirects and response bodies of Cardigann indexers.
  - `feed`, `newznab`: Newznab/Torznab APIs and their XML feeds.
  - `auth`, `db`, `ids`, `migrate`: API keys, stored values and the
    migration command's decisions.
  - `model`, `error`, `text`, `pairs`, `datetime`, `validate`: the
    definition schema as plain data, and shared pieces.
- `tests/` — tests of the library, run against the compiled crate.
- `app/` — the `oxidarr-migrate` command and the I/O around the library:
  YAML definitions, the `reqwest` client, login and search orchestration,
  SQLite repositories and the `axum` API-key middleware.
