# secondbrain

A local journal of what happens on this machine: a text-only screen capture
loop, a WhatsApp extractor and a menubar app, writing into one SQLite store.

`src/` is the verified library (Verus):

- `capture` — which OCR text is kept (trimmed, at least 8 UTF-8 bytes), the
  text hash that detects changes, and `SegmentTracker`, the open segment of
  each window: opened once, text recorded only when it changes, closed when
  the window leaves its monitor; and `capture_step`, which holds the loop
  while capture is paused.
- `whatsapp` — message rendering, group detection, the (chat, UTC day)
  segment of a message, and `SyncState`, the run of one sync: watermarks,
  the segment cache and the report.
- `menubar` — the 16x16 status icon's pixels, the status line, and what a menu
  choice (pause, resume, open data folder, quit) leads to.
- `models` — the store's row types.
- `text`, `assoc` — verified string helpers and association lists.

`app/` is the program around it: clap subcommands, the store (sqlx), the
file copying and SQL reads of the WhatsApp extractor, the capture loop's
screen capture and OCR, and the tray icon.

`tests/` exercises the library on concrete values.
