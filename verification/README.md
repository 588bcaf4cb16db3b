# nil-core

The verified core of a small Linux desktop suite: a screenshot tool with an annotation
editor and text recognition, a clipboard history, and a notes window.

`src/` is the library, with its specifications and proofs:

- `capture` — temporary capture files, the hold-to-select key protocol, the steps of a capture.
- `screen` — which desktop tools a capture or a clipboard copy runs, in what order.
- `shot`, `paths` — the screenshot program's command line, settings, folders and editor state.
- `ocr`, `detect` — reading `tesseract` output into lines, links and colour codes.
- `encoding` — Base64 data URLs of images.
- `gallery` — the saved captures, newest first, a page at a time.
- `history`, `editor` — the editor's undo history, tools, keyboard and crop label.
- `clip` — the clipboard window: filters, search, keys, entry descriptions.
- `notes`, `note_text` — the notes store and how notes are shown.
- `text` — the character-level model the rest is stated in.

`app/` is the screenshot program around it: it runs the commands, reads files, the clock and
the environment, and keeps the floating-point geometry of the editor. `tests/` runs the
library on concrete values.
