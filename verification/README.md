# disaity

A Discord music and chat bot, split in two:

- `src/` — the library, verified with Verus: time parsing and formatting,
  the command checks and playback decisions, queue paging, the `ask`
  conversation history and reply splitting, the Spotify page scraping
  (title, playlist JSON walk, search queries), the configuration
  registries, prayer subscriptions, the idle timer, the now-playing
  messages and the status rotation.
- `app/` — the program around it: the gateway client and command
  framework (serenity, poise), voice (songbird), HTTP (reqwest), the model
  client (gemini-rust), `yt-dlp`, and the configuration and subscription
  files (serde).
- `tests/` — tests of the library on concrete values.

The voice crate `songbird`, which app/ calls for joining calls and playing
tracks, is not among the dependencies in `Cargo.toml`: its dependency tree
is larger than this crate may pull in. app/ therefore does not build as it
stands; src/ and tests/ do not depend on it.
