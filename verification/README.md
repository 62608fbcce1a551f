# dsh_thin_desktop

The verified core of a thin desktop shell around the DeepSeek Harness web UI
(`dsh web`): it localizes the shell's own strings, decides which event-stream
frames become desktop notifications and what they say, keeps the cache of
session titles shown in the window title, works out the backend's address and
the `PATH` it is launched with, and makes the small decisions that drive the
backend watcher, the menus and the tray.

Layout:

- `src/` — the library, verified with Verus:
  - `text.rs` — character-level helpers (search, trimming, joining);
  - `i18n.rs` — language detection and the message table with `{}` substitution;
  - `notify.rs` — notification texts and frame handling;
  - `titles.rs` — the session-title cache and window titles;
  - `backend.rs` — announced URLs, probe addresses, `PATH` assembly, launch plans, status reports and the watcher's decisions;
  - `events.rs` — event-stream address, reconnection backoff, envelope filtering;
  - `window.rs` — menu, tray and window-toggle decisions.
- `tests/` — tests of the library.
- `app/` — the Tauri application around it: environment, processes, network, window and notification plumbing.
