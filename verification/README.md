# showdown-hunter

A chat poll for streamers over Pokémon move sets drawn from the Smogon
strategy dex. The streamer opens a poll over a few randomly drawn move sets,
viewers vote, and closing the poll names the option with the most votes (the
first of them on a tie).

- `src/` is the verified library:
  - `text.rs`: dex and sprite names, the lines of a move set, event-stream
    frames;
  - `votes.rs`: the ballot (one choice per voter), the count per option and
    the leading option;
  - `poll.rs`: the server's poll state and its operations (open, vote, read
    a vote, close);
  - `draw.rs`: the random draw of distinct standard Pokémon that fills a poll.
- `tests/` runs the library on concrete values.
- `app/` is the web server and the page: server functions, event streams,
  the sprite proxy, and the widgets.

`app/` talks to the Smogon strategy dex through `smog_strat_dex_rs`, which
is not published on crates.io; `Cargo.toml` therefore does not list it, and
`app/` builds only where that crate is provided. `leptos_router` is listed
only to turn on its `stable` feature: `leptos_actix` depends on it, and
without that feature it needs a nightly compiler.
