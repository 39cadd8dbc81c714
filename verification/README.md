# bgg_cli

A command-line tool that keeps a local cache of a BoardGameGeek user's
collection and reports on it, with its core written in Verus and proved
against its contracts.

## Layout

- `src/` — the verified library.
  - `model.rs`: collection items, the key-ordered cache file, login cookies.
  - `cache.rs`: merging fetched items into the cache, with the laws of a merge.
  - `list/`: `--filter`, `--sort` and `--cols` parsing, the stable row sort,
    and the table layout.
  - `stats/`: the overview and the plays, ratings, year, time and players
    deep dives, and the proof that the deep dives agree with the overview.
  - `bgg/`: the collection request, what each HTTP answer means, and turning
    parsed XML fields into items.
  - `auth.rs`, `cmd/auth.rs`: reading the login cookies, and the `auth`
    command as a state machine.
  - `cmd/sync.rs`, `cmd/status.rs`, `cmd/list.rs`: the decisions of the other
    commands.
  - `config.rs`, `paths.rs`, `clock.rs`, `text.rs`, `error.rs`: the config file,
    file locations, times, text helpers and errors.
- `app/` — the program around it: argument parsing, files, the network, the
  OS keyring, terminal output, and the floating-point figures.
- `tests/` — tests of the library on concrete values.

Ratings are carried through the library as `u32` order keys of the `f32`
values (see `src/model.rs`); the program converts at its edges.
