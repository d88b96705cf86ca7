# godot_asset_browser

An asset browser for the Godot editor: a catalogue of assets with search,
paging and sorting, installation tracking and update checks, asset sources with
health tracking and fallbacks, a client for the Godot Asset Library API with
caching and rate limiting, downloads with retries (exponential backoff), an image cache, credentials,
configuration and user features (favorites, ratings, history, collections).

- `src/` is the library, written in Verus: every function carries a contract
  and is verified. Network access and file reading and writing stay outside it.
  Three questions to the machine are asked from inside, each behind a small
  trusted function with no stated answer: the system clock (`clock.rs`), and
  whether a path exists or is a directory (`paths.rs`, for the cache check and
  the file-based adapters' health checks). Every function that reads the clock
  has a counterpart that takes the instant as an argument and is exact.
- `tests/` exercises the library on concrete values.
- `app/` is the Godot extension around the library: the JSON forms of its
  records, file and network access, archive extraction, and the editor
  interface.
