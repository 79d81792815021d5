# tunecraft

The core of a desktop music player, written in Verus: every function under
`src/` carries a contract that Verus proves.

- `playback` — the play queue: next/previous navigation with repeat modes,
  shuffle orders drawn by a seeded Fisher–Yates shuffle (`shuffle`), the
  scrobble threshold check and the state version counter; `session` finishes
  "next"/"previous" requests.
- `library`, `track_list`, `folders`, `sidebar` — paging, sorting, scan
  status, favorites, the folder browser and the sidebar with its badges.
- `lyrics` — LRC parsing (stable-sorted by timestamp), LRCLIB query URLs and
  the choice among fetched results.
- `tick`, `engine`, `media` — the audio engine's per-tick notifications,
  transport state, dither generator and media-key handling.
- `convolution` — the room-correction sizing: impulse-response length check
  and FFT size.
- `gapless` — the slot that holds the next track's pre-built session.
- `output` — opening the audio output: stream configuration for shared and
  exclusive mode, the device for direct hardware access, the PipeWire
  socket of the current user and device-change errors.
- `pcm_cache` — a bounded LRU cache of decoded audio over the `lru` crate.
- `presets` — genre and per-device presets.
- `settings`, `toasts`, `converters`, `text` — settings saving and themes,
  toast notifications, UI rows, and character-level text helpers.

`tests/` exercises the library. `app/` is the ordinary Rust around it: the
floating-point signal chain and player state, JSON bodies, clocks and the
file system.

Not part of this project: the Slint and egui user interface, the track
database and the scrobble history kept in it, the GStreamer/cpal audio
engine host (decode pipelines, output streams, DSP threads), and the
desktop integration (MPRIS, tray, notifications). The library holds the
decisions those parts take; `app/` holds the floating-point and
environment-bound pieces that remain.
