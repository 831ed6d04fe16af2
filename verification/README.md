# web_video_catcher

The logic of a desktop video catcher, proved with Verus: it classifies the
links a web page requests (MP4, HLS, DASH, audio, TS), keeps a bounded list of
captured media without duplicates, tracks download tasks, and decides how a
download runs (built-in downloader or yt-dlp, with which arguments), what its
errors say, which file it produced and what that file is called.

Layout:

- `src/` — the verified library.
  - `text.rs`, `chars.rs`: string specifications and their executable counterparts.
  - `bilingual.rs`: the two-language messages, written and read with serde_json.
  - `sniffer.rs`: link classification and its laws.
  - `keyed.rs`, `state.rs`: the application state (media list, tasks, capture session) and its laws.
  - `download.rs`, `ytdlp.rs`, `web.rs`, `merge.rs`: download decisions, yt-dlp command lines, headers and cookies, stream picking.
  - `capture.rs`, `proxy.rs`, `update.rs`: capture-browser reports, the proxy's request parsing, version comparison and release checks.
  - `cert.rs`: the proxy's certificate authority, made with rcgen.
- `tests/` — tests of the library on concrete values.
- `app/` — the Tauri application around it: commands, windows, processes,
  files and network, and the serde forms of the records.
