# redlib

The verified core of a privacy-first Reddit front-end with Reddit accounts,
custom feeds and a local "smart feed" reader. The library in `src/` holds the
decisions of the front-end — how a request's account is resolved, what a form
is checked for, which cookies are set, which posts a feed keeps — each with a
contract proved by Verus. `app/` is a small command-line program around it
that does the I/O: reading settings and browser cookie databases, running
SSH, and launching the desktop server.

## Layout

- `src/text.rs` — string and number helpers with their specifications.
- `src/crypto.rs` — the calls into the cryptography, encoding, JSON and
  regular-expression crates, each with the contract it is trusted to meet.
- `src/auth.rs`, `src/login.rs`, `src/ssh_import.rs`, `src/token_import/` —
  sessions and the session vault, login and logout, importing a browser
  session locally or over SSH.
- `src/subreddit.rs`, `src/post.rs`, `src/user.rs`, `src/search.rs`,
  `src/feeds.rs`, `src/inbox.rs`, `src/api.rs`, `src/actions.rs` — the pages
  and forms.
- `src/settings.rs`, `src/config.rs`, `src/desktop.rs` — preference cookies,
  instance settings and the desktop launcher.
- `src/smart_feed/`, `src/state.rs` — channels, presets, filters, title
  clustering and the reading-state rows.
- `tests/` — tests on concrete values, run against the real outside crates.

Laws that relate several operations are public proof functions named
`lemma_*` next to the functions they speak of.
