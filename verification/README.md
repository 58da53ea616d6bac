# wallpaper_manager

Wallpaper management for a macOS desktop app, as a verified library.

- `src/domain.rs` — screens, assignments, states, batch reports.
- `src/error.rs` — the error enum with its stable codes and messages.
- `src/image.rs` — image path validation over an `ImageFileSystem`
  (the file-system queries are answered by the application).
- `src/store.rs` — the store of what the system was last seen to show.
- `src/application.rs` — `WallpaperManager`: refresh, single, all-screen
  and per-screen sets, with read-back confirmation.
- `src/display_watcher.rs` — topology changes between display snapshots.
- `src/backend.rs`, `src/bridge/` — the platform backend trait and the
  (not yet connected) AppKit bridge.
- `src/status.rs`, `src/text.rs` — the backend status line and text helpers.
- `app/` — the Tauri shell: the real file system, serialisable copies and
  the command that reports the backend status.
