# meetly_core

The decisions of a meeting assistant, written and proved in Verus.

- `src/` is the library: what an agent run asks and answers next, which web searches it may make,
  the prompts, the retrieval of passages, the requests to language and speech services and the
  reading of their replies, where speech starts and ends, in which order transcripts are shown,
  where windows stand, which settings are usable. Every function states what it returns, and the
  `law_` proof functions state what holds across calls.
- `app/` is ordinary Rust around it: network, files, devices, windows, floating-point signal
  processing, and the copies of the library's types that are written as JSON.
- `tests/` runs the library from outside.

The few items that are believed and not proved stand in `text.rs`, `json.rs`,
`providers/stt/data_url.rs`, `audio/speaker/ring.rs` and `app/screen_capture.rs`; the comment above
each one says what is believed of which outside function.
