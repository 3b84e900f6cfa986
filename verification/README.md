# peercode

The core of PeerCode, a peer-to-peer collaborative code editor, written in
Verus. The functions in `src/` carry contracts that Verus proves, except for
a few small trusted wrappers around std, `url`, `hex`, `rand` and
`serde_json`, whose contracts restate what those libraries document.

- `src/gc.rs` – state vectors, the peer table of the host's garbage
  collector, the per-client floor and when a compaction is due.
- `src/sv_report.rs` – when a guest reports its state vector to the host.
- `src/persistence.rs`, `src/line_endings.rs`, `src/paths.rs` – the `.pcdoc`
  frame, what is read from a file's bytes, line-ending handling, library
  document names, paths and the recent-file list.
- `src/session.rs`, `src/urls.rs` – session roles and their transitions, room
  and join URLs.
- `src/processes.rs`, `src/metrics.rs` – the gateway and cloudflared helper
  processes: their arguments and output, the launch steps, and the tunnel
  metrics.
- `src/config.rs`, `src/identity.rs` – log levels and the username.
- `src/text.rs` – character-level helpers shared by the above.

`app/` holds the unverified edges: file and network I/O, the configuration
and identity files, reading metric values as floating-point numbers, and the
serde forms of the library's types. `tests/` runs the library on concrete
inputs.
