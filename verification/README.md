# zenith

The terminal core of the Zenith terminal emulator, written in Verus.

- `src/` is the verified library: the cell model (`cell`), the screen grid
  with scrollback, selection and text extraction (`grid`, `text`), the
  escape-sequence state machine (`term`), the command history behind inline
  suggestions (`history`), and, for the renderer, the glyph-atlas packing
  (`atlas`), the glyph bitmap conversions (`bitmap`), the per-frame paint
  plan (`render`), and the name and environment a shell is started with
  (`shell`). Each public function states its result over a
  mathematical model of its type; the `law_*` proof functions state what
  holds across calls.
- `app/` is ordinary Rust around the library: the VT byte parser (`vte`)
  feeding the state machine, the PTY, the configuration file, the
  shell-integration script, the history file, font rasterization with
  cosmic-text, GPU instance geometry and the C ABI used by the macOS front end.
- `tests/` exercises the library through its public API.
