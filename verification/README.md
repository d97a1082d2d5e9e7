# cursor_pet

The core of a desktop pet that follows the mouse cursor, written in Verus and
proved against its contracts.

- `src/text.rs`: Unicode white space, trimming, decimal `i32` parsing and
  formatting (with the proof that they undo each other).
- `src/png.rs`: width and height from a PNG header.
- `src/hypr.rs`: Hyprland's socket location, its `cursorpos` and monitor
  replies, and the window-rule and dispatch commands for the overlay.
- `src/cursor.rs`: where cursor positions come from.
- `src/pets.rs`: bundled and custom pets, safe ids, sheet checks, import ids,
  the pet list, deletion, the data URL of a custom sheet.
- `src/order.rs`: text order and sorting.
- `src/events.rs`: the cursor stream, pause, tray menu, settings window and
  update-check decisions.
- `src/paths.rs`: the opaque `PathBuf` and the few path calls used.
- `app/`: the Tauri shell (windows, tray, files, sockets, floating-point
  settings and monitor sizes).
