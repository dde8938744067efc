# media_downloader

Download engines for video sites and chat channels, with the rules that decide
what is fetched, where it goes and when a transfer is finished written and proved
in Verus.

- `src/configuration` – settings: what may be configured and what follows from it
- `src/jav` – a video site: challenges and cookies, listings, HLS playlists,
  segments, merging, tasks and the daily job
- `src/p91` – a clip site: sessions, listings, video pages, resumable transfers
- `src/telegram` – chats: signing in, scanning, retries, the loop of the engine
- `src/migration` – taking over what earlier releases left behind
- `src/video_resolution.rs` – which videos are too small to be downloaded
- `src/storage`, `src/logging.rs` – what is remembered of downloads, chats and
  partial files, and the log that clients follow
- `src/outside` – what is taken from other crates, each behind a function with a
  stated contract
- `src/text.rs`, `src/table.rs`, `src/rewrite.rs`, `src/paths.rs` – text, tables,
  replacements in text, and paths

A machine in the library says what to do next; `app/` does it and says what came
of it. `app/` holds the web server, files, processes and the network, and whatever
is a floating-point number.
