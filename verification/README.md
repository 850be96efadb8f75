# bwtui

A terminal client for the Bitwarden command line tool (`bw`), written in
Verus.

`src/` is the verified library:

- `text.rs`: trimming, prefix and suffix tests, substring search and
  splitting on a separator, as specifications over `Seq<char>` and as
  verified code over index ranges of a `Vec<char>`.
- `lib.rs`: reading the objects of a pretty-printed `bw list items`
  listing, building items from them, and finding the session key in the
  output of `bw unlock`.
- `app.rs`: the accounts (usernames and passwords sealed under a random
  session key), reading the listing into them, opening one for display,
  and how key presses change the state of the application.
- `secrets.rs`: the calls into `simple_crypt`, `zeroize` and `rand`, with
  the contracts the rest of the library relies on.
- `ui.rs`: where the login box goes on the screen (through `ratatui`'s
  layout solver).

`app/` is the terminal program around it: drawing with `ratatui`, reading
keys, running `bw` and `jq`, and the clipboard. `tests/` exercises the
library.
