# rlibrary-core

The core of a Z-Library client: searching for books, logging in and finding the address of a
file, over connections that announce a server name of their own and answer the site's
proof-of-work challenge.

- `src/` decides everything: which requests are made, what follows a response, how a challenge
  is read and solved, which cookies a request carries, how accounts take turns, what the
  exported functions answer. Its contracts are proved with Verus. Calls into other crates
  (`http`, `regex`, `serde_json`, `serde_urlencoded`, `sha1`, `url`) stand behind small wrappers
  whose contracts are trusted; each says so in its doc comment.
- `app/` does the rest: TLS connections, the lookup of the site's address, the SQLite file with
  the accounts, the clock, and the functions exported to C.
- `tests/` runs the library with the real crates.

| Module | What it holds |
|---|---|
| `client::sni` | requests, redirects, repeated requests, routes |
| `client::challenge` | the challenge, its solution and its cookies |
| `client::cookies` | cookie texts |
| `client::ip` | the site's address |
| `apis::search`, `apis::login`, `apis::download` | what a caller can ask for |
| `account::pool` | the accounts |
| `ffi` | the answers of the exported functions |
| `text`, `number`, `headers`, `form`, `json`, `link`, `pattern` | what the others are built on |
